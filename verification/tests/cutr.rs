use csv::StringRecord;
use textutils::cutr::extract::{extract_bytes, extract_chars, extract_fields};
use textutils::cutr::selector::parse_index;
use textutils::cutr::{parse_positions, run, Config, ConfigError, Extract};
use textutils::report::{is_stdin, Failure, FileTarget};

fn parse(token: &str) -> Result<std::ops::Range<usize>, String> {
    parse_index(&token.to_string()).map_err(|e| e.message())
}

fn tokens(list: &[&str]) -> Vec<String> {
    list.iter().map(|t| t.to_string()).collect()
}

fn readable(name: &str, data: &[u8]) -> FileTarget {
    FileTarget { name: name.to_string(), content: Ok(data.to_vec()) }
}

#[test]
fn single_position_is_one_wide() {
    assert_eq!(parse("1"), Ok(0..1));
    assert_eq!(parse("7"), Ok(6..7));
    assert_eq!(parse("0012"), Ok(11..12));
}

#[test]
fn inclusive_range_becomes_half_open() {
    assert_eq!(parse("1-3"), Ok(0..3));
    assert_eq!(parse("2-2"), Ok(1..2));
    assert_eq!(parse("10-25"), Ok(9..25));
}

#[test]
fn reversed_range_is_kept_as_written() {
    let r = parse("5-2").unwrap();
    assert_eq!((r.start, r.end), (4, 2));
    assert_eq!(extract_chars("abcdefg", &[r]), "");
    let r = parse("3-0").unwrap();
    assert_eq!((r.start, r.end), (2, 0));
}

#[test]
fn open_ended_and_repeated_dashes() {
    assert_eq!(parse("4-"), Ok(3..4));
    assert_eq!(parse("4--6"), Ok(3..6));
}

#[test]
fn ill_formed_tokens_are_refused() {
    for bad in ["", "-", "-3", "a", "1a", "1-a", "1,2", "+1", "1-2-3", " 1", "1 ", "٣"] {
        assert_eq!(parse(bad), Err(format!("Invalid range \"{}\"", bad)));
    }
}

#[test]
fn zero_is_no_position() {
    assert_eq!(parse("0"), Err("Invalid range \"0\"".to_string()));
    assert_eq!(parse("0-3"), Err("Invalid range \"0-3\"".to_string()));
    assert_eq!(parse("000"), Err("Invalid range \"000\"".to_string()));
}

#[test]
fn numbers_beyond_the_word_are_refused() {
    let max = usize::MAX.to_string();
    assert_eq!(parse(&max), Ok(usize::MAX - 1..usize::MAX));
    let over = format!("{}0", max);
    assert!(parse(&over).is_err());
    assert!(parse(&format!("1-{}", over)).is_err());
    assert_eq!(parse(&format!("1-{}", max)), Ok(0..usize::MAX));
}

#[test]
fn first_bad_token_fails_the_list() {
    assert_eq!(parse_positions(&tokens(&["1", "3-4"])).unwrap(), vec![0..1, 2..4]);
    let e = parse_positions(&tokens(&["1", "x", "0"])).unwrap_err();
    assert_eq!(e.token, "x");
    assert_eq!(e.message(), "Invalid range \"x\"");
    assert!(parse_positions(&tokens(&[])).unwrap().is_empty());
}

#[test]
fn chars_are_never_cut_apart() {
    assert_eq!(extract_chars("", &[0..1]), "");
    assert_eq!(extract_chars("ábc", &[0..1]), "á");
    assert_eq!(extract_chars("ábc", &[0..1, 2..3]), "ác");
    assert_eq!(extract_chars("ábc", &[0..3]), "ábc");
    assert_eq!(extract_chars("ábc", &[2..3, 1..2]), "cb");
    assert_eq!(extract_chars("ábc", &[0..1, 1..2, 4..5]), "áb");
    assert_eq!(extract_chars("héllo", &[0..2]), "hé");
}

#[test]
fn bytes_may_cut_a_character_apart() {
    assert_eq!(extract_bytes("ábc", &[0..1]), "\u{fffd}");
    assert_eq!(extract_bytes("ábc", &[0..2]), "á");
    assert_eq!(extract_bytes("ábc", &[0..3]), "áb");
    assert_eq!(extract_bytes("ábc", &[0..4]), "ábc");
    assert_eq!(extract_bytes("ábc", &[3..4, 2..3]), "cb");
    assert_eq!(extract_bytes("ábc", &[0..2, 5..6]), "á");
    assert_eq!(extract_bytes("héllo", &[0..2]), "h\u{fffd}");
}

#[test]
fn bytes_and_chars_agree_on_ascii() {
    let sels = [1..3, 0..1, 2..9, 7..8];
    assert_eq!(extract_bytes("hello", &sels), extract_chars("hello", &sels));
    assert_eq!(extract_bytes("hello", &sels), "elhllo");
}

#[test]
fn fields_follow_selector_order() {
    let rec = StringRecord::from(vec!["Captain", "Sham", "12345"]);
    assert_eq!(extract_fields(&rec, &[0..1]), &["Captain"]);
    assert_eq!(extract_fields(&rec, &[1..2]), &["Sham"]);
    assert_eq!(extract_fields(&rec, &[0..1, 2..3]), &["Captain", "12345"]);
    assert_eq!(extract_fields(&rec, &[0..1, 3..4]), &["Captain"]);
    assert_eq!(extract_fields(&rec, &[1..2, 0..1]), &["Sham", "Captain"]);
}

#[test]
fn overlapping_and_repeated_selectors_repeat_fields() {
    let rec = StringRecord::from(vec!["a", "b", "c"]);
    assert_eq!(extract_fields(&rec, &[1..2, 0..1, 1..2]), &["b", "a", "b"]);
    assert_eq!(extract_fields(&rec, &[0..2, 1..3]), &["a", "b", "b", "c"]);
}

#[test]
fn positions_beyond_the_record_are_passed_over() {
    let rec = StringRecord::from(vec!["a", "b", "c"]);
    assert!(extract_fields(&rec, &[10..11]).is_empty());
    assert_eq!(extract_fields(&rec, &[2..usize::MAX]), &["c"]);
    assert!(extract_fields(&rec, &[]).is_empty());
}

#[test]
fn all_fields_in_order_give_the_record_back() {
    let rec = StringRecord::from(vec!["a,b", "say \"hi\"", "", "x"]);
    let all = extract_fields(&rec, &[0..4]);
    assert_eq!(all, rec.iter().collect::<Vec<_>>());
    let piecewise = extract_fields(&rec, &[0..1, 1..3, 3..4]);
    assert_eq!(piecewise, all);
    let config = Config { files: vec![], delimiter: b',', extract: Extract::Fields(vec![0..4]) };
    let line = b"\"a,b\",\"say \"\"hi\"\"\",,x\n";
    let out = run(&config, &vec![readable("in", line)]);
    assert_eq!(out.output, line.to_vec());
}

#[test]
fn two_fields_of_a_record() {
    let positions = parse_positions(&tokens(&["1", "3"])).unwrap();
    let config = Config { files: vec![], delimiter: b',', extract: Extract::Fields(positions) };
    let out = run(&config, &vec![readable("people", b"bob,25,Boston")]);
    assert_eq!(String::from_utf8(out.output).unwrap(), "bob,Boston\n");
    assert!(out.failure.is_none());
    assert!(out.diagnostics.is_empty());
}

#[test]
fn adjoining_selectors_pick_every_field_between() {
    let config = Config {
        files: vec![],
        delimiter: b',',
        extract: Extract::Fields(vec![0..2, 2..3]),
    };
    let out = run(&config, &vec![readable("people", b"bob,25,Boston\n")]);
    assert_eq!(String::from_utf8(out.output).unwrap(), "bob,25,Boston\n");
}

#[test]
fn fields_are_quoted_again_where_needed() {
    let config = Config { files: vec![], delimiter: b'\t', extract: Extract::Fields(vec![1..2, 0..1]) };
    let out = run(&config, &vec![readable("t", b"a\t\"b\tc\"\nd\t\"e\"\"f\"\ng\t\"h\ni\"\n")]);
    assert_eq!(
        String::from_utf8(out.output).unwrap(),
        "\"b\tc\"\ta\n\"e\"\"f\"\td\n\"h\ni\"\tg\n"
    );
}

#[test]
fn a_record_without_selected_fields_is_written_empty() {
    let config = Config { files: vec![], delimiter: b',', extract: Extract::Fields(vec![5..6]) };
    let out = run(&config, &vec![readable("t", b"a,b\nc,d\n")]);
    assert_eq!(String::from_utf8(out.output).unwrap(), "\"\"\n\"\"\n");
    assert!(out.failure.is_none());
}

#[test]
fn a_record_of_another_length_ends_the_run() {
    let config = Config { files: vec![], delimiter: b',', extract: Extract::Fields(vec![0..1]) };
    let targets = vec![readable("one", b"a,b\nc\ne,f\n"), readable("two", b"x,y\n")];
    let out = run(&config, &targets);
    assert_eq!(String::from_utf8(out.output).unwrap(), "a\n");
    match out.failure {
        Some(Failure::Record(text)) => assert!(text.contains("found record with 1 fields")),
        other => panic!("{:?}", other),
    }
}

#[test]
fn a_missing_file_is_reported_and_passed_over() {
    let config = Config { files: vec![], delimiter: b'\t', extract: Extract::Chars(vec![0..1]) };
    let targets = vec![
        readable("first", b"abc\ndef\n"),
        FileTarget { name: "gone".to_string(), content: Err("No such file or directory (os error 2)".to_string()) },
        readable("third", b"ghi\r\njkl"),
    ];
    let out = run(&config, &targets);
    assert_eq!(String::from_utf8(out.output).unwrap(), "a\nd\ng\nj\n");
    assert_eq!(out.diagnostics, vec!["gone: No such file or directory (os error 2)"]);
    assert!(out.failure.is_none());
}

#[test]
fn bytes_and_chars_of_a_line_with_an_accent() {
    let line = "héllo\n".as_bytes();
    let bytes = Config { files: vec![], delimiter: b'\t', extract: Extract::Bytes(vec![0..2]) };
    let out = run(&bytes, &vec![readable("-", line)]);
    assert_eq!(String::from_utf8(out.output).unwrap(), "h\u{fffd}\n");
    let chars = Config { files: vec![], delimiter: b'\t', extract: Extract::Chars(vec![0..2]) };
    let out = run(&chars, &vec![readable("-", line)]);
    assert_eq!(String::from_utf8(out.output).unwrap(), "hé\n");
}

#[test]
fn a_line_that_is_not_text_ends_the_run() {
    let config = Config { files: vec![], delimiter: b'\t', extract: Extract::Bytes(vec![0..1]) };
    let targets = vec![readable("one", b"ab\n\xff\ncd\n"), readable("two", b"ef\n")];
    let out = run(&config, &targets);
    assert_eq!(out.output, b"a\n".to_vec());
    assert!(matches!(out.failure, Some(Failure::InvalidText)));
}

#[test]
fn empty_lines_and_empty_input() {
    let config = Config { files: vec![], delimiter: b'\t', extract: Extract::Chars(vec![0..1]) };
    let out = run(&config, &vec![readable("e", b""), readable("n", b"\n\nx\n")]);
    assert_eq!(String::from_utf8(out.output).unwrap(), "\n\nx\n");
}

#[test]
fn configuration_is_validated_in_order() {
    let files = vec!["-".to_string()];
    let c = Config::new(files.clone(), ",", Some(tokens(&["1", "2-3"])), None, None).unwrap();
    assert_eq!(c.delimiter, b',');
    assert_eq!(c.files, files);
    assert!(matches!(c.extract, Extract::Fields(ref p) if *p == vec![0..1, 1..3]));
    let c = Config::new(vec![], "\t", None, Some(tokens(&["2"])), None).unwrap();
    assert!(matches!(c.extract, Extract::Bytes(ref p) if *p == vec![1..2]));
    let c = Config::new(vec![], "\t", None, None, Some(tokens(&["2"]))).unwrap();
    assert!(matches!(c.extract, Extract::Chars(ref p) if *p == vec![1..2]));

    let e = Config::new(vec![], ",,", Some(tokens(&["1", "b"])), None, None).unwrap_err();
    assert_eq!(e.message(), "Invalid range \"b\"");
    let e = Config::new(vec![], ",,", Some(tokens(&["1"])), None, None).unwrap_err();
    assert_eq!(e.message(), "--delim \",,\" must be a single byte");
    let e = Config::new(vec![], "é", None, None, Some(tokens(&["1"]))).unwrap_err();
    assert!(matches!(e, ConfigError::InvalidDelimiter(_)));
    let e = Config::new(vec![], "", None, None, Some(tokens(&["1"]))).unwrap_err();
    assert!(matches!(e, ConfigError::InvalidDelimiter(_)));
    let e = Config::new(vec![], ",", None, None, None).unwrap_err();
    assert!(matches!(e, ConfigError::MissingMode));
    assert_eq!(e.message(), "one of --fields, --bytes or --chars is required");
    let e = Config::new(vec![], ",", Some(vec![]), None, Some(vec![])).unwrap_err();
    assert!(matches!(e, ConfigError::ConflictingModes));
    assert_eq!(e.message(), "only one of --fields, --bytes or --chars may be given");
}

#[test]
fn a_dash_names_standard_input() {
    assert!(is_stdin("-"));
    assert!(!is_stdin(""));
    assert!(!is_stdin("--"));
    assert!(!is_stdin("file"));
}
