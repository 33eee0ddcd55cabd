//! Counting the lines, words, bytes and characters of text.

use crate::decimal::{aligned_number, digits_of, right_aligned};
use crate::report::{diagnostic, diagnostic_line, is_stdin, names_stdin, Failure, FileTarget, Outcome, Report};
use crate::text::{append, chars_of, decode, push_char, strings};
use vstd::prelude::*;
use vstd::string::StringExecFns;
use vstd::utf8::{decode_utf8, encode_utf8, valid_utf8};

verus! {

/// Which counts a run shows, and for which inputs.
#[derive(Debug)]
pub struct Config {
    pub files: Vec<String>,
    pub lines: bool,
    pub words: bool,
    pub bytes: bool,
    pub chars: bool,
}

/// The counts of one input.
#[derive(Debug, PartialEq)]
pub struct FileInfo {
    pub lines: usize,
    pub bytes: usize,
    pub chars: usize,
    pub words: usize,
}

/// Counts as mathematical numbers.
pub struct Tally {
    pub lines: nat,
    pub words: nat,
    pub bytes: nat,
    pub chars: nat,
}

impl View for FileInfo {
    type V = Tally;

    open spec fn view(&self) -> Tally {
        Tally {
            lines: self.lines as nat,
            words: self.words as nat,
            bytes: self.bytes as nat,
            chars: self.chars as nat,
        }
    }
}

/// `c` has the Unicode property `White_Space`.
pub open spec fn is_whitespace(c: char) -> bool {
    ||| '\u{9}' <= c <= '\u{d}'
    ||| c == ' '
    ||| c == '\u{85}'
    ||| c == '\u{a0}'
    ||| c == '\u{1680}'
    ||| '\u{2000}' <= c <= '\u{200a}'
    ||| c == '\u{2028}'
    ||| c == '\u{2029}'
    ||| c == '\u{202f}'
    ||| c == '\u{205f}'
    ||| c == '\u{3000}'
}

/// A word starts at position `i`: a character that is not white space, at
/// the start of the text or after white space.
pub open spec fn starts_word(text: Seq<char>, i: int) -> bool {
    !is_whitespace(text[i]) && (i == 0 || is_whitespace(text[i - 1]))
}

/// The number of words in `text`: maximal runs of characters that are not
/// white space.
pub open spec fn word_count(text: Seq<char>) -> nat
    decreases text.len(),
{
    if text.len() == 0 {
        0
    } else {
        word_count(text.drop_last()) + if starts_word(text, text.len() - 1) {
            1nat
        } else {
            0nat
        }
    }
}

/// A line ends with the `n`-th character: that character is a line feed, or
/// the last of the text.
pub open spec fn ends_line(text: Seq<char>, n: int) -> bool {
    0 < n <= text.len() && (text[n - 1] == '\n' || n == text.len())
}

/// The number of lines that end within the first `n` characters.
pub open spec fn lines_upto(text: Seq<char>, n: nat) -> nat
    decreases n,
{
    if n == 0 {
        0
    } else {
        lines_upto(text, (n - 1) as nat) + if ends_line(text, n as int) {
            1nat
        } else {
            0nat
        }
    }
}

/// The sum, over the lines that end within the first `n` characters, of the
/// number of characters from the start of the text to the end of the line.
pub open spec fn chars_upto(text: Seq<char>, n: nat) -> nat
    decreases n,
{
    if n == 0 {
        0
    } else {
        chars_upto(text, (n - 1) as nat) + if ends_line(text, n as int) {
            n
        } else {
            0nat
        }
    }
}

/// The sum, over the lines that end within the first `n` characters, of the
/// number of words from the start of the text to the end of the line.
pub open spec fn words_upto(text: Seq<char>, n: nat) -> nat
    decreases n,
{
    if n == 0 {
        0
    } else {
        words_upto(text, (n - 1) as nat) + if ends_line(text, n as int) {
            word_count(text.take(n as int))
        } else {
            0nat
        }
    }
}

/// The counts of a text.
///
/// Lines are counted by their ends, and bytes by the encoding of the text.
/// Words and characters are counted at the end of each line over all the
/// text from its start to that point, and these counts are added up: on a
/// text of one line they are its words and characters.
pub open spec fn tally(text: Seq<char>) -> Tally {
    Tally {
        lines: lines_upto(text, text.len()),
        words: words_upto(text, text.len()),
        bytes: encode_utf8(text).len(),
        chars: chars_upto(text, text.len()),
    }
}

/// Every count fits the machine's word.
pub open spec fn fits(t: Tally) -> bool {
    t.lines <= usize::MAX && t.words <= usize::MAX && t.bytes <= usize::MAX && t.chars
        <= usize::MAX
}

/// The sum of two tallies, count by count.
pub open spec fn plus(a: Tally, b: Tally) -> Tally {
    Tally {
        lines: a.lines + b.lines,
        words: a.words + b.words,
        bytes: a.bytes + b.bytes,
        chars: a.chars + b.chars,
    }
}

/// The sums over line ends grow with the number of characters considered.
pub proof fn lemma_upto_monotonic(text: Seq<char>, n: nat, m: nat)
    requires
        n <= m,
    ensures
        lines_upto(text, n) <= lines_upto(text, m),
        chars_upto(text, n) <= chars_upto(text, m),
        words_upto(text, n) <= words_upto(text, m),
        lines_upto(text, m) <= m,
    decreases m,
{
    if m > 0 {
        lemma_upto_monotonic(text, 0, (m - 1) as nat);
        if n < m {
            lemma_upto_monotonic(text, n, (m - 1) as nat);
        }
    }
}

/// Tells whether `c` is white space.
pub fn whitespace(c: char) -> (r: bool)
    ensures
        r == is_whitespace(c),
{
    ('\u{9}' <= c && c <= '\u{d}') || c == ' ' || c == '\u{85}' || c == '\u{a0}' || c
        == '\u{1680}' || ('\u{2000}' <= c && c <= '\u{200a}') || c == '\u{2028}' || c
        == '\u{2029}' || c == '\u{202f}' || c == '\u{205f}' || c == '\u{3000}'
}

/// Counts the lines, words, bytes and characters of `text`.
///
/// Fails where a count does not fit the machine's word, and only there.
pub fn count(text: &str) -> (r: Result<FileInfo, Failure>)
    ensures
        match r {
            Ok(info) => fits(tally(text@)) && info@ == tally(text@),
            Err(f) => !fits(tally(text@)) && f is Overflow,
        },
{
    let chars = chars_of(text);
    let n: usize = chars.len();
    let mut lines: usize = 0;
    let mut total_chars: usize = 0;
    let mut total_words: usize = 0;
    let mut seen_words: usize = 0;
    let mut i: usize = 0;
    while i < n
        invariant
            i <= n,
            n == chars@.len(),
            chars@ == text@,
            lines == lines_upto(text@, i as nat),
            total_chars == chars_upto(text@, i as nat),
            total_words == words_upto(text@, i as nat),
            seen_words == word_count(text@.take(i as int)),
            lines <= i,
            seen_words <= i,
        decreases n - i,
    {
        let c: char = chars[i];
        let word_start: bool = !whitespace(c) && (i == 0 || whitespace(chars[i - 1]));
        proof {
            let prefix = text@.take(i + 1);
            assert(prefix.drop_last() == text@.take(i as int));
            assert(prefix[i as int] == text@[i as int]);
            if i > 0 {
                assert(prefix[i - 1] == text@[i - 1]);
            }
            assert(word_start == starts_word(prefix, i as int));
            lemma_upto_monotonic(text@, (i + 1) as nat, n as nat);
        }
        if word_start {
            seen_words += 1;
        }
        if c == '\n' || i + 1 == n {
            lines += 1;
            total_chars = match total_chars.checked_add(i + 1) {
                Some(sum) => sum,
                None => {
                    return Err(Failure::Overflow);
                },
            };
            total_words = match total_words.checked_add(seen_words) {
                Some(sum) => sum,
                None => {
                    return Err(Failure::Overflow);
                },
            };
        }
        i += 1;
    }
    let bytes: usize = text.as_bytes().len();
    Ok(FileInfo { lines, bytes, chars: total_chars, words: total_words })
}

/// One column of a report: the number set flush right in eight places, or
/// nothing where the column is not shown.
pub open spec fn field_text(value: nat, show: bool) -> Seq<char> {
    if show {
        right_aligned(digits_of(value), 8)
    } else {
        Seq::empty()
    }
}

/// Formats one column of a report.
pub fn format_field(value: usize, show: bool) -> (text: String)
    ensures
        text@ == field_text(value as nat, show),
{
    if show {
        aligned_number(value, 8)
    } else {
        String::new()
    }
}

impl Config {
    /// The configuration for the given inputs and flags. Where none of
    /// `lines`, `words` and `bytes` is asked for, all three are shown.
    pub fn new(files: Vec<String>, lines: bool, words: bool, bytes: bool, chars: bool) -> (c: Config)
        ensures
            c.files == files,
            c.chars == chars,
            lines || words || bytes ==> c.lines == lines && c.words == words && c.bytes == bytes,
            !lines && !words && !bytes ==> c.lines && c.words && c.bytes,
    {
        if !lines && !words && !bytes {
            Config { files, lines: true, words: true, bytes: true, chars }
        } else {
            Config { files, lines, words, bytes, chars }
        }
    }
}

/// The label after the counts of an input: nothing for standard input, and
/// a space and the name for a file.
pub open spec fn label_of(name: Seq<char>) -> Seq<char> {
    if names_stdin(name) {
        Seq::empty()
    } else {
        seq![' '] + name
    }
}

/// One line of a report: the columns that are shown, in the order lines,
/// words, bytes, characters, then the label, then a line feed.
pub open spec fn report_text(t: Tally, config: Config, label: Seq<char>) -> Seq<char> {
    field_text(t.lines, config.lines) + field_text(t.words, config.words) + field_text(
        t.bytes,
        config.bytes,
    ) + field_text(t.chars, config.chars) + label + seq!['\n']
}

/// What a run over the given inputs produces, with `totals` counted so far.
///
/// An input that could not be opened adds a diagnostic line. An input that
/// was read adds its line of counts, and its counts are added to the totals.
/// After the last input the totals are written if `many` holds. The run
/// fails at an input that is not well-formed UTF-8 or whose counts do not
/// fit, before its line is written, and at an input that takes the totals
/// beyond the machine's word, after its line is written.
pub open spec fn run_result(
    targets: Seq<FileTarget>,
    config: Config,
    totals: Tally,
    many: bool,
) -> Report
    decreases targets.len(),
{
    if targets.len() == 0 {
        Report {
            output: if many {
                encode_utf8(report_text(totals, config, " total"@))
            } else {
                Seq::empty()
            },
            diagnostics: Seq::empty(),
            failed: false,
        }
    } else {
        match targets[0].content {
            Err(cause) => {
                let rest = run_result(targets.drop_first(), config, totals, many);
                Report {
                    output: rest.output,
                    diagnostics: seq![diagnostic(""@, targets[0].name@, cause@)] + rest.diagnostics,
                    failed: rest.failed,
                }
            },
            Ok(data) => {
                let counts = tally(decode_utf8(data@));
                let line = encode_utf8(report_text(counts, config, label_of(targets[0].name@)));
                if !valid_utf8(data@) || !fits(counts) {
                    Report { output: Seq::empty(), diagnostics: Seq::empty(), failed: true }
                } else if !fits(plus(totals, counts)) {
                    Report { output: line, diagnostics: Seq::empty(), failed: true }
                } else {
                    let rest = run_result(
                        targets.drop_first(),
                        config,
                        plus(totals, counts),
                        many,
                    );
                    Report {
                        output: line + rest.output,
                        diagnostics: rest.diagnostics,
                        failed: rest.failed,
                    }
                }
            },
        }
    }
}

/// No counts at all.
pub open spec fn nothing() -> Tally {
    Tally { lines: 0, words: 0, bytes: 0, chars: 0 }
}

/// Formats one line of a report.
pub fn report_line(info: &FileInfo, config: &Config, label: &str) -> (line: String)
    ensures
        line@ == report_text(info@, *config, label@),
{
    let mut line = format_field(info.lines, config.lines);
    line.append(format_field(info.words, config.words).as_str());
    line.append(format_field(info.bytes, config.bytes).as_str());
    line.append(format_field(info.chars, config.chars).as_str());
    line.append(label);
    push_char(&mut line, '\n');
    line
}

/// The sum of two sets of counts, where every sum fits.
pub fn add_counts(a: &FileInfo, b: &FileInfo) -> (sum: Option<FileInfo>)
    ensures
        match sum {
            Some(s) => fits(plus(a@, b@)) && s@ == plus(a@, b@),
            None => !fits(plus(a@, b@)),
        },
{
    let lines = a.lines.checked_add(b.lines);
    let words = a.words.checked_add(b.words);
    let bytes = a.bytes.checked_add(b.bytes);
    let chars = a.chars.checked_add(b.chars);
    match (lines, words, bytes, chars) {
        (Some(lines), Some(words), Some(bytes), Some(chars)) => Some(
            FileInfo { lines, bytes, chars, words },
        ),
        _ => None,
    }
}

/// Counts each input and reports the counts, with a line of totals where
/// there is more than one input.
pub fn run(config: &Config, targets: &Vec<FileTarget>) -> (outcome: Outcome)
    ensures
        outcome@ == run_result(targets@, *config, nothing(), targets@.len() > 1),
        outcome.failure matches Some(f) ==> f is InvalidText || f is Overflow,
{
    let many: bool = targets.len() > 1;
    let mut totals = FileInfo { lines: 0, bytes: 0, chars: 0, words: 0 };
    let mut output: Vec<u8> = Vec::new();
    let mut diagnostics: Vec<String> = Vec::new();
    let mut i: usize = 0;
    proof {
        assert(targets@.skip(0) == targets@);
    }
    while i < targets.len()
        invariant
            i <= targets@.len(),
            many == (targets@.len() > 1),
            run_result(targets@, *config, nothing(), many).output == output@ + run_result(
                targets@.skip(i as int),
                *config,
                totals@,
                many,
            ).output,
            run_result(targets@, *config, nothing(), many).diagnostics == strings(diagnostics@)
                + run_result(targets@.skip(i as int), *config, totals@, many).diagnostics,
            run_result(targets@, *config, nothing(), many).failed == run_result(
                targets@.skip(i as int),
                *config,
                totals@,
                many,
            ).failed,
        decreases targets@.len() - i,
    {
        let ghost before = strings(diagnostics@);
        let ghost written = output@;
        let ghost rest_targets = targets@.skip(i + 1);
        proof {
            assert(targets@.skip(i as int).drop_first() == rest_targets);
            assert(targets@.skip(i as int)[0] == targets@[i as int]);
        }
        let target = &targets[i];
        match &target.content {
            Err(cause) => {
                diagnostics.push(diagnostic_line("", &target.name, cause));
                proof {
                    let line = diagnostic(""@, target.name@, cause@);
                    let rest = run_result(rest_targets, *config, totals@, many);
                    assert(strings(diagnostics@) == before + seq![line]);
                    assert(before + (seq![line] + rest.diagnostics) == (before + seq![line])
                        + rest.diagnostics);
                }
            },
            Ok(data) => {
                proof {
                    assert(before + Seq::<Seq<char>>::empty() == before);
                    assert(written + Seq::<u8>::empty() == written);
                }
                let text = match decode(data.as_slice()) {
                    Some(text) => text,
                    None => {
                        return Outcome { output, diagnostics, failure: Some(Failure::InvalidText) };
                    },
                };
                let info = match count(text) {
                    Ok(info) => info,
                    Err(failure) => {
                        return Outcome { output, diagnostics, failure: Some(failure) };
                    },
                };
                let line = if is_stdin(target.name.as_str()) {
                    report_line(&info, config, "")
                } else {
                    let mut label = String::from_str(" ");
                    label.append(target.name.as_str());
                    proof {
                        reveal_strlit(" ");
                        assert(" "@ == seq![' ']);
                    }
                    report_line(&info, config, label.as_str())
                };
                proof {
                    reveal_strlit("");
                    assert(""@ == Seq::<char>::empty());
                }
                append(&mut output, line.as_str().as_bytes());
                totals = match add_counts(&totals, &info) {
                    Some(sum) => sum,
                    None => {
                        return Outcome { output, diagnostics, failure: Some(Failure::Overflow) };
                    },
                };
                proof {
                    let rest = run_result(rest_targets, *config, totals@, many);
                    let part = encode_utf8(line@);
                    assert(written + (part + rest.output) == (written + part) + rest.output);
                }
            },
        }
        i += 1;
    }
    if many {
        let line = report_line(&totals, config, " total");
        append(&mut output, line.as_str().as_bytes());
    }
    proof {
        assert(output@ + Seq::<u8>::empty() == output@);
        assert(strings(diagnostics@) + Seq::<Seq<char>>::empty() == strings(diagnostics@));
    }
    Outcome { output, diagnostics, failure: None }
}

} // verus!
