use textutils::decimal::{aligned_number, digits, number, number_u64};
use textutils::echor::echo;
use textutils::gcd::{gcd, reply, Status};
use textutils::lines::{line_end, stripped_len};
use textutils::report::{Failure, FileTarget};
use textutils::{catr, headr, uniqr};

fn readable(name: &str, data: &[u8]) -> FileTarget {
    FileTarget { name: name.to_string(), content: Ok(data.to_vec()) }
}

fn missing(name: &str) -> FileTarget {
    FileTarget { name: name.to_string(), content: Err("No such file or directory (os error 2)".to_string()) }
}

fn words(list: &[&str]) -> Vec<String> {
    list.iter().map(|w| w.to_string()).collect()
}

fn text(bytes: Vec<u8>) -> String {
    String::from_utf8(bytes).unwrap()
}

#[test]
fn hello1() {
    assert_eq!(echo(&words(&["Hello there"]), false), "Hello there\n");
}

#[test]
fn hello2() {
    assert_eq!(echo(&words(&["Hello", "there"]), false), "Hello there\n");
}

#[test]
fn hello1_no_newline() {
    assert_eq!(echo(&words(&["Hello there"]), true), "Hello there");
}

#[test]
fn hello2_no_newline() {
    assert_eq!(echo(&words(&["Hello", "there"]), true), "Hello there");
}

#[test]
fn echo_of_nothing() {
    assert_eq!(echo(&words(&[]), false), "\n");
    assert_eq!(echo(&words(&[]), true), "");
    assert_eq!(echo(&words(&["", ""]), true), " ");
}

#[test]
fn gcd_of_positive_numbers() {
    assert_eq!(gcd(14, 15), 1);
    assert_eq!(gcd(2 * 3 * 5 * 11 * 17, 3 * 7 * 11 * 13 * 19), 3 * 11);
    assert_eq!(gcd(1, 1), 1);
    assert_eq!(gcd(12, 18), 6);
    assert_eq!(gcd(18, 12), 6);
    assert_eq!(gcd(u64::MAX, u64::MAX), u64::MAX);
    assert_eq!(gcd(u64::MAX, 1), 1);
}

#[test]
fn gcd_reply_refuses_zero() {
    for (n, m) in [(0, 5), (5, 0), (0, 0)] {
        let r = reply(n, m);
        assert_eq!(r.status, Status::BadRequest);
        assert_eq!(r.content_type, "text/html");
        assert_eq!(r.body, "Computing the GCD with zero is boring");
    }
    let r = reply(12, 18);
    assert_eq!(r.status, Status::Answered);
    assert_eq!(r.content_type, "text/plain");
    assert_eq!(r.body, "Result: 6");
}

#[test]
fn numbers_in_decimal() {
    assert_eq!(number(0), "0");
    assert_eq!(number(9), "9");
    assert_eq!(number(10), "10");
    assert_eq!(number(1234567890), "1234567890");
    assert_eq!(number(usize::MAX), usize::MAX.to_string());
    assert_eq!(number_u64(u64::MAX), "18446744073709551615");
    assert_eq!(digits(507), vec!['5', '0', '7']);
    assert_eq!(aligned_number(42, 6), "    42");
    assert_eq!(aligned_number(42, 2), "42");
    assert_eq!(aligned_number(42, 1), "42");
    assert_eq!(aligned_number(0, 4), "   0");
}

#[test]
fn lines_end_after_their_line_feed() {
    let data = b"ab\n\ncd\r\nef";
    assert_eq!(line_end(data, 0), 3);
    assert_eq!(line_end(data, 1), 3);
    assert_eq!(line_end(data, 2), 3);
    assert_eq!(line_end(data, 3), 4);
    assert_eq!(line_end(data, 4), 8);
    assert_eq!(line_end(data, 8), 10);
    assert_eq!(stripped_len(b"ab\n"), 2);
    assert_eq!(stripped_len(b"ab\r\n"), 2);
    assert_eq!(stripped_len(b"ab\r"), 3);
    assert_eq!(stripped_len(b"ab"), 2);
    assert_eq!(stripped_len(b"\n"), 0);
    assert_eq!(stripped_len(b"\r\n"), 0);
    assert_eq!(stripped_len(b"\r\r\n"), 1);
    assert_eq!(stripped_len(b""), 0);
}

#[test]
fn cat_copies_lines() {
    let config = catr::Config { files: vec![], number_lines: false, number_nonblank_lines: false };
    let out = catr::run(&config, &vec![readable("a", b"one\r\n\ntwo"), missing("b"), readable("c", b"three\n")]);
    assert_eq!(text(out.output), "one\n\ntwo\nthree\n");
    assert_eq!(out.diagnostics, vec!["Failed to open b: No such file or directory (os error 2)"]);
    assert!(out.failure.is_none());
}

#[test]
fn cat_numbers_every_line() {
    let config = catr::Config { files: vec![], number_lines: true, number_nonblank_lines: true };
    let out = catr::run(&config, &vec![readable("a", b"one\n\ntwo\n"), readable("b", b"three\n")]);
    assert_eq!(text(out.output), "     1\tone\n     2\t\n     3\ttwo\n     1\tthree\n");
}

#[test]
fn cat_numbers_lines_that_are_not_empty() {
    let config = catr::Config { files: vec![], number_lines: false, number_nonblank_lines: true };
    let out = catr::run(&config, &vec![readable("a", b"\none\n\n\ntwo\n \n")]);
    assert_eq!(text(out.output), "\n     1\tone\n\n\n     2\ttwo\n     3\t \n");
}

#[test]
fn cat_stops_at_what_is_not_text() {
    let config = catr::Config { files: vec![], number_lines: true, number_nonblank_lines: false };
    let out = catr::run(&config, &vec![readable("a", b"one\n\xff\xfe\ntwo\n"), readable("b", b"x\n")]);
    assert_eq!(text(out.output), "     1\tone\n");
    assert!(matches!(out.failure, Some(Failure::InvalidText)));
}

#[test]
fn head_shows_the_first_lines() {
    let config = headr::Config { files: vec![], lines: 2, bytes: None, quite: false };
    let out = headr::run(&config, &vec![readable("a", b"1\n2\r\n3\n4\n")]);
    assert_eq!(text(out.output), "1\n2\n");
    let out = headr::run(&config, &vec![readable("a", b"1")]);
    assert_eq!(text(out.output), "1\n");
    let none = headr::Config { files: vec![], lines: 0, bytes: None, quite: false };
    let out = headr::run(&none, &vec![readable("a", b"1\n2\n")]);
    assert_eq!(text(out.output), "");
}

#[test]
fn head_puts_headers_before_several_inputs() {
    let config = headr::Config { files: vec![], lines: 1, bytes: None, quite: false };
    let targets = vec![readable("a", b"1\n2\n"), missing("b"), readable("c", b"3\n4\n")];
    let out = headr::run(&config, &targets);
    assert_eq!(text(out.output), "\n==> a <==\n1\n\n==> c <==\n3\n");
    assert_eq!(out.diagnostics, vec!["Failed to open file b: No such file or directory (os error 2)"]);
    let quiet = headr::Config { files: vec![], lines: 1, bytes: None, quite: true };
    let out = headr::run(&quiet, &targets);
    assert_eq!(text(out.output), "1\n3\n");
}

#[test]
fn head_shows_the_first_bytes() {
    let config = headr::Config { files: vec![], lines: 10, bytes: Some(4), quite: false };
    let out = headr::run(&config, &vec![readable("a", "aébc\nd".as_bytes())]);
    assert_eq!(text(out.output), "aéb");
    let config = headr::Config { files: vec![], lines: 10, bytes: Some(2), quite: false };
    let out = headr::run(&config, &vec![readable("a", "aébc\nd".as_bytes())]);
    assert_eq!(text(out.output), "a\u{fffd}");
    let config = headr::Config { files: vec![], lines: 10, bytes: Some(99), quite: false };
    let out = headr::run(&config, &vec![readable("a", b"ab\n")]);
    assert_eq!(text(out.output), "ab\n");
}

#[test]
fn head_looks_no_further_than_it_shows() {
    let config = headr::Config { files: vec![], lines: 1, bytes: None, quite: false };
    let out = headr::run(&config, &vec![readable("a", b"ok\n\xff\n")]);
    assert_eq!(text(out.output), "ok\n");
    assert!(out.failure.is_none());
    let config = headr::Config { files: vec![], lines: 2, bytes: None, quite: false };
    let out = headr::run(&config, &vec![readable("a", b"ok\n\xff\n")]);
    assert_eq!(text(out.output), "ok\n");
    assert!(matches!(out.failure, Some(Failure::InvalidText)));
}

fn uniq(data: &[u8], count: bool) -> String {
    let config = uniqr::Config { in_file: "-".to_string(), out_file: None, count };
    let out = uniqr::run(&config, &readable("-", data));
    assert!(out.failure.is_none());
    text(out.output)
}

#[test]
fn empty() {
    assert_eq!(uniq(b"", false), "");
}

#[test]
fn empty_count() {
    assert_eq!(uniq(b"", true), "");
}

#[test]
fn uniq_writes_each_run_once() {
    assert_eq!(uniq(b"a\n", false), "a\n");
    assert_eq!(uniq(b"a\na\n", false), "a\n");
    assert_eq!(uniq(b"a\na\nb\n", false), "a\nb\n");
    assert_eq!(uniq(b"a\nb\na\n", false), "a\nb\na\n");
    assert_eq!(uniq(b"a\na\nb\nc\nc\nc", false), "a\nb\nc\n");
    assert_eq!(uniq(b"a\nb", false), "a\nb");
}

#[test]
fn uniq_counts_each_run() {
    assert_eq!(uniq(b"a\n", true), "   1 a\n");
    assert_eq!(uniq(b"a\na\nb\n", true), "   2 a\n   1 b\n");
    assert_eq!(uniq(b"a\nb\na\nc\nc\nc\nc\n", true), "   1 a\n   1 b\n   1 a\n   4 c\n");
}

#[test]
fn uniq_takes_no_account_of_white_space_at_the_end() {
    assert_eq!(uniq(b"a \na\r\na\t\nb\n", true), "   3 a \n   1 b\n");
    assert_eq!(uniq(b"a\na", false), "a\n");
    assert_eq!(uniq(b" a\na\n", false), " a\na\n");
}

#[test]
fn uniq_joins_leading_blank_lines_to_nothing() {
    assert_eq!(uniq(b"\n\na\n", true), "   2    1 a\n");
    assert_eq!(uniq(b"\n\na\n", false), "a\n");
    assert_eq!(uniq(b"a\n\n\nb\n", false), "a\n\nb\n");
}

#[test]
fn uniq_fails_where_the_input_cannot_be_opened() {
    let config = uniqr::Config { in_file: "gone".to_string(), out_file: None, count: false };
    let out = uniqr::run(&config, &missing("gone"));
    assert!(out.output.is_empty());
    match out.failure {
        Some(f) => assert_eq!(f.message(), "gone: No such file or directory (os error 2)"),
        None => panic!("no failure"),
    }
}

#[test]
fn uniq_stops_at_what_is_not_text() {
    let config = uniqr::Config { in_file: "x".to_string(), out_file: None, count: false };
    let out = uniqr::run(&config, &readable("x", b"a\nb\n\xff\nc\n"));
    assert_eq!(text(out.output), "a\n");
    assert!(matches!(out.failure, Some(Failure::InvalidText)));
}
