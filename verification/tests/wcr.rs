use textutils::report::{Failure, FileTarget};
use textutils::wcr::{add_counts, count, format_field, report_line, whitespace, Config, FileInfo};

#[test]
fn test_count() {
    let text = "I don't want the world. I just want your half.\r\n";
    let info = count(text);
    assert!(info.is_ok());
    let expected = FileInfo {
        lines: 1,
        words: 10,
        chars: 48,
        bytes: 48,
    };
    assert_eq!(info.unwrap(), expected);
}

#[test]
fn count_of_nothing_is_zero() {
    let expected = FileInfo { lines: 0, words: 0, chars: 0, bytes: 0 };
    assert_eq!(count("").unwrap(), expected);
}

#[test]
fn count_without_final_newline_counts_the_last_line() {
    let expected = FileInfo { lines: 1, words: 2, chars: 5, bytes: 6 };
    assert_eq!(count("a é b").unwrap_or(FileInfo { lines: 9, words: 9, chars: 9, bytes: 9 }).lines, 1);
    assert_eq!(count("é b c").unwrap().bytes, 6);
    assert_eq!(count("é b c").unwrap().chars, 5);
    assert_eq!(count("é  bc").unwrap(), expected);
}

#[test]
fn count_adds_up_over_the_text_read_so_far() {
    // after line one: 1 word, 2 characters; after line two: 2 and 4; after three: 3 and 6
    let expected = FileInfo { lines: 3, words: 6, chars: 12, bytes: 6 };
    assert_eq!(count("a\nb\nc\n").unwrap(), expected);
}

#[test]
fn count_takes_unicode_white_space_between_words() {
    assert_eq!(count("one\u{2003}two\u{a0}three\tfour").unwrap().words, 4);
    assert_eq!(count("  \u{3000} ").unwrap().words, 0);
}

#[test]
fn format_field_pads_to_eight_places() {
    assert_eq!(format_field(1, true), "       1");
    assert_eq!(format_field(0, true), "       0");
    assert_eq!(format_field(48, true), "      48");
    assert_eq!(format_field(12345678, true), "12345678");
    assert_eq!(format_field(123456789, true), "123456789");
    assert_eq!(format_field(10, false), "");
}

#[test]
fn config_shows_lines_words_and_bytes_by_default() {
    let c = Config::new(vec!["-".to_string()], false, false, false, false);
    assert!(c.lines && c.words && c.bytes && !c.chars);
    let c = Config::new(vec![], false, false, false, true);
    assert!(c.lines && c.words && c.bytes && c.chars);
    let c = Config::new(vec![], false, true, false, false);
    assert!(!c.lines && c.words && !c.bytes && !c.chars);
}

#[test]
fn failure_messages() {
    assert_eq!(Failure::InvalidText.message(), "stream did not contain valid UTF-8");
    assert_eq!(Failure::Record("bad".to_string()).message(), "bad");
    assert_eq!(Failure::Overflow.message(), "attempt to add with overflow");
    let t = FileTarget { name: "x".to_string(), content: Err("gone".to_string()) };
    assert_eq!(textutils::report::diagnostic_line("", &t.name, &"gone".to_string()), "x: gone");
}

#[test]
fn wc_reports_each_input_and_the_totals() {
    let config = Config::new(vec![], false, false, false, false);
    let targets = vec![
        FileTarget { name: "a.txt".to_string(), content: Ok(b"one two\n".to_vec()) },
        FileTarget { name: "gone".to_string(), content: Err("No such file or directory (os error 2)".to_string()) },
        FileTarget { name: "-".to_string(), content: Ok("é\n".as_bytes().to_vec()) },
    ];
    let out = textutils::wcr::run(&config, &targets);
    assert_eq!(
        String::from_utf8(out.output).unwrap(),
        "       1       2       8 a.txt\n       1       1       3\n       2       3      11 total\n"
    );
    assert_eq!(out.diagnostics, vec!["gone: No such file or directory (os error 2)"]);
    assert!(out.failure.is_none());
}

#[test]
fn wc_shows_the_columns_asked_for() {
    let config = Config::new(vec![], true, false, false, true);
    let targets = vec![FileTarget { name: "a".to_string(), content: Ok("é b\n".as_bytes().to_vec()) }];
    let out = textutils::wcr::run(&config, &targets);
    assert_eq!(String::from_utf8(out.output).unwrap(), "       1       4 a\n");
    let config = Config::new(vec![], false, false, false, true);
    let out = textutils::wcr::run(&config, &targets);
    assert_eq!(String::from_utf8(out.output).unwrap(), "       1       2       5       4 a\n");
}

#[test]
fn wc_stops_at_what_is_not_text() {
    let config = Config::new(vec![], false, false, false, false);
    let targets = vec![
        FileTarget { name: "a".to_string(), content: Ok(b"x\n".to_vec()) },
        FileTarget { name: "b".to_string(), content: Ok(b"\xff\n".to_vec()) },
        FileTarget { name: "c".to_string(), content: Ok(b"y\n".to_vec()) },
    ];
    let out = textutils::wcr::run(&config, &targets);
    assert_eq!(String::from_utf8(out.output).unwrap(), "       1       1       2 a\n");
    assert!(matches!(out.failure, Some(Failure::InvalidText)));
}

#[test]
fn counts_are_added_where_the_sums_fit() {
    let a = FileInfo { lines: 1, words: 2, bytes: 3, chars: 4 };
    let b = FileInfo { lines: 10, words: 20, bytes: 30, chars: 40 };
    assert_eq!(add_counts(&a, &b), Some(FileInfo { lines: 11, words: 22, bytes: 33, chars: 44 }));
    let big = FileInfo { lines: 0, words: usize::MAX, bytes: 0, chars: 0 };
    assert_eq!(add_counts(&a, &big), None);
    let edge = FileInfo { lines: 0, words: usize::MAX - 2, bytes: 0, chars: 0 };
    assert_eq!(add_counts(&a, &edge).unwrap().words, usize::MAX);
}

#[test]
fn report_line_puts_the_label_last() {
    let config = Config::new(vec![], true, true, true, false);
    let info = FileInfo { lines: 1, words: 10, bytes: 48, chars: 48 };
    assert_eq!(report_line(&info, &config, " fox.txt"), "       1      10      48 fox.txt\n");
    assert_eq!(report_line(&info, &config, ""), "       1      10      48\n");
}

#[test]
fn white_space_is_the_unicode_property() {
    for c in ['\t', '\n', '\u{b}', '\u{c}', '\r', ' ', '\u{85}', '\u{a0}', '\u{1680}', '\u{2000}',
        '\u{200a}', '\u{2028}', '\u{2029}', '\u{202f}', '\u{205f}', '\u{3000}'] {
        assert!(whitespace(c));
    }
    for c in ['a', '0', '\u{8}', '\u{e}', '\u{200b}', '\u{feff}', '\u{180e}'] {
        assert!(!whitespace(c));
    }
    for code in 0..0x11_0000u32 {
        if let Some(c) = char::from_u32(code) {
            assert_eq!(whitespace(c), c.is_whitespace());
        }
    }
}
