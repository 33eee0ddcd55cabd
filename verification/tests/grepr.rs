use regex::{Regex, RegexBuilder};
use textutils::grepr::{find_files, find_lines, run, Candidate, Config, Probe};
use textutils::report::{Failure, FileTarget};

fn candidate(path: &str, probe: Probe) -> Candidate {
    Candidate { path: path.to_string(), probe }
}

fn config(pattern: &str, insensitive: bool, recursive: bool, count: bool, invert: bool) -> Config {
    Config::new(pattern, insensitive, vec![], recursive, count, invert).unwrap()
}

fn file(name: &str, data: &[u8]) -> Result<FileTarget, String> {
    Ok(FileTarget { name: name.to_string(), content: Ok(data.to_vec()) })
}

#[test]
fn test_find_lines() {
    let text = b"Lorem\nIpsum\r\nDOLOR";

    // The pattern _or_ should match the one line, "Lorem"
    let re1 = Regex::new("or").unwrap();
    let matches = find_lines(&text[..], &re1, false);
    assert!(matches.is_ok());
    assert_eq!(matches.unwrap().len(), 1);

    // When inverted, the function should match the other two lines
    let matches = find_lines(&text[..], &re1, true);
    assert!(matches.is_ok());
    assert_eq!(matches.unwrap().len(), 2);

    // This regex will be case-insensitive
    let re2 = RegexBuilder::new("or").case_insensitive(true).build().unwrap();

    // The two lines "Lorem" and "DOLOR" should match
    let matches = find_lines(&text[..], &re2, false);
    assert!(matches.is_ok());
    assert_eq!(matches.unwrap().len(), 2);

    // When inverted, the one remaining line should match
    let matches = find_lines(&text[..], &re2, true);
    assert!(matches.is_ok());
    assert_eq!(matches.unwrap().len(), 1);
}

#[test]
fn test_find_files() {
    // Verify that the function finds a file known to exist
    let files = find_files(&vec![candidate("./tests/inputs/fox.txt", Probe::File)], false);
    assert_eq!(files.len(), 1);
    assert_eq!(files[0].as_ref().unwrap(), "./tests/inputs/fox.txt");

    // The function should reject a directory without the recursive option
    let inside = || {
        Probe::Directory(vec![
            "./tests/inputs/nobody.txt".to_string(),
            "./tests/inputs/bustle.txt".to_string(),
            "./tests/inputs/fox.txt".to_string(),
            "./tests/inputs/empty.txt".to_string(),
        ])
    };
    let files = find_files(&vec![candidate("./tests/inputs", inside())], false);
    assert_eq!(files.len(), 1);
    assert_eq!(files[0].as_ref().unwrap_err(), "./tests/inputs: Is a directory");

    // Verify the function recurses to find four files in the directory
    let res = find_files(&vec![candidate("./tests/inputs", inside())], true);
    let mut files: Vec<String> = res.iter().map(|r| r.as_ref().unwrap().replace("\\", "/")).collect();
    files.sort();
    assert_eq!(files.len(), 4);
    assert_eq!(
        files,
        vec![
            "./tests/inputs/bustle.txt",
            "./tests/inputs/empty.txt",
            "./tests/inputs/fox.txt",
            "./tests/inputs/nobody.txt",
        ]
    );

    // A file that does not exist comes back as an error
    let bad = candidate("q7Xk2pZ", Probe::Unreadable("No such file or directory (os error 2)".to_string()));
    let files = find_files(&vec![bad], false);
    assert_eq!(files.len(), 1);
    assert!(files[0].is_err());
    assert_eq!(files[0].as_ref().unwrap_err(), "q7Xk2pZ: No such file or directory (os error 2)");
}

#[test]
fn find_files_keeps_order_and_passes_over_other_kinds() {
    let files = find_files(
        &vec![
            candidate("-", Probe::Other),
            candidate("socket", Probe::Other),
            candidate("d", Probe::Directory(vec!["d/b".to_string(), "d/a".to_string()])),
            candidate("f", Probe::File),
        ],
        true,
    );
    assert_eq!(
        files,
        vec![Ok("-".to_string()), Ok("d/b".to_string()), Ok("d/a".to_string()), Ok("f".to_string())]
    );
}

#[test]
fn find_lines_gives_the_lines_without_their_endings() {
    let re = Regex::new("^.{5}$").unwrap();
    let found = find_lines(b"Lorem\nIpsum\r\nDOLOR\nno\n", &re, false).unwrap();
    assert_eq!(found, vec!["Lorem", "Ipsum", "DOLOR"]);
    let found = find_lines(b"Lorem\nIpsum\r\nDOLOR\nno\n", &re, true).unwrap();
    assert_eq!(found, vec!["no"]);
    assert!(find_lines(b"", &re, true).unwrap().is_empty());
}

#[test]
fn find_lines_refuses_what_is_not_text() {
    let re = Regex::new("a").unwrap();
    assert!(matches!(find_lines(b"a\n\xc3\n", &re, false), Err(Failure::InvalidText)));
}

#[test]
fn an_invalid_pattern_is_reported_by_its_text() {
    let e = Config::new("(", false, vec![], false, false, false).unwrap_err();
    assert_eq!(e.pattern, "(");
    assert_eq!(e.message(), "Invalid pattern \"(\"");
}

#[test]
fn one_input_is_shown_without_its_name() {
    let out = run(&config("o", false, false, false, false), &vec![file("a.txt", b"one\ntwo\nthree\n")]);
    assert_eq!(String::from_utf8(out.output).unwrap(), "one\ntwo\n");
    assert!(out.diagnostics.is_empty());
    assert!(out.failure.is_none());
}

#[test]
fn several_inputs_are_told_apart_by_name() {
    let targets = vec![
        file("a.txt", b"one\ntwo\n"),
        Err("dir: Is a directory".to_string()),
        Ok(FileTarget { name: "b.txt".to_string(), content: Err("Permission denied (os error 13)".to_string()) }),
        file("c.txt", b"FOUR\nfive"),
    ];
    let out = run(&config("o", true, false, false, false), &targets);
    assert_eq!(String::from_utf8(out.output).unwrap(), "a.txt:one\na.txt:two\nc.txt:FOUR\n");
    assert_eq!(
        out.diagnostics,
        vec!["dir: Is a directory", "Failed to open b.txt: Permission denied (os error 13)"]
    );
}

#[test]
fn counts_replace_the_lines() {
    let targets = vec![file("a.txt", b"one\ntwo\nthree\n"), file("b.txt", b"")];
    let out = run(&config("t", false, false, true, false), &targets);
    assert_eq!(String::from_utf8(out.output).unwrap(), "a.txt:2\nb.txt:0\n");
    let out = run(&config("t", false, false, true, true), &vec![file("a.txt", b"one\ntwo\nthree\n")]);
    assert_eq!(String::from_utf8(out.output).unwrap(), "1\n");
    let out = run(&config("t", false, true, true, true), &vec![file("a.txt", b"one\ntwo\nthree\n")]);
    assert_eq!(String::from_utf8(out.output).unwrap(), "a.txt:1\n");
}

#[test]
fn a_line_that_is_not_text_ends_the_search() {
    let targets = vec![file("a", b"ab\n"), file("b", b"a\xff\n"), file("c", b"ac\n")];
    let out = run(&config("a", false, false, false, false), &targets);
    assert_eq!(String::from_utf8(out.output).unwrap(), "a:ab\n");
    assert!(matches!(out.failure, Some(Failure::InvalidText)));
}
