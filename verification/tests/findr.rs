use textutils::findr::{run, Config, Entry, EntryType};

fn entry(path: &str, kind: Option<EntryType>) -> Result<Entry, String> {
    let file_name = path.rsplit('/').next().unwrap().to_string();
    Ok(Entry { path: path.to_string(), file_name, kind })
}

fn walk() -> Vec<Result<Entry, String>> {
    vec![
        entry("./a", Some(EntryType::Dir)),
        entry("./a/a.txt", Some(EntryType::File)),
        Err("IO error for operation on ./a/locked: Permission denied (os error 13)".to_string()),
        entry("./a/b", Some(EntryType::Dir)),
        entry("./a/b/b.csv", Some(EntryType::File)),
        entry("./a/b/link.txt", Some(EntryType::Link)),
        entry("./a/pipe", None),
    ]
}

fn names(list: &[&str]) -> Vec<String> {
    list.iter().map(|n| n.to_string()).collect()
}

#[test]
fn everything_is_wanted_where_nothing_is_asked_for() {
    let config = Config::new(vec![".".to_string()], &vec![], vec![]).unwrap();
    let out = run(&config, &vec![walk()]);
    assert_eq!(
        String::from_utf8(out.output).unwrap(),
        "./a\n./a/a.txt\n./a/b\n./a/b/b.csv\n./a/b/link.txt\n./a/pipe\n"
    );
    assert_eq!(
        out.diagnostics,
        vec!["IO error for operation on ./a/locked: Permission denied (os error 13)"]
    );
    assert!(out.failure.is_none());
}

#[test]
fn entries_are_chosen_by_type() {
    let config = Config::new(vec![], &vec![], vec![EntryType::File]).unwrap();
    let out = run(&config, &vec![walk()]);
    assert_eq!(String::from_utf8(out.output).unwrap(), "./a/a.txt\n./a/b/b.csv\n");
    let config = Config::new(vec![], &vec![], vec![EntryType::Link, EntryType::Dir]).unwrap();
    let out = run(&config, &vec![walk()]);
    assert_eq!(String::from_utf8(out.output).unwrap(), "./a\n./a/b\n./a/b/link.txt\n");
}

#[test]
fn entries_are_chosen_by_name() {
    let config = Config::new(vec![], &names(&[r"\.txt$", "^b"]), vec![]).unwrap();
    let out = run(&config, &vec![walk()]);
    assert_eq!(
        String::from_utf8(out.output).unwrap(),
        "./a/a.txt\n./a/b\n./a/b/b.csv\n./a/b/link.txt\n"
    );
    let config = Config::new(vec![], &names(&[r"\.txt$"]), vec![EntryType::Link]).unwrap();
    let out = run(&config, &vec![walk()]);
    assert_eq!(String::from_utf8(out.output).unwrap(), "./a/b/link.txt\n");
}

#[test]
fn each_path_gets_its_own_lines() {
    let config = Config::new(vec![], &names(&["csv"]), vec![]).unwrap();
    let out = run(&config, &vec![walk(), vec![], walk()]);
    assert_eq!(String::from_utf8(out.output).unwrap(), "./a/b/b.csv\n\n./a/b/b.csv\n");
    assert_eq!(out.diagnostics.len(), 2);
    let out = run(&config, &vec![]);
    assert!(out.output.is_empty());
}

#[test]
fn an_invalid_name_is_reported_by_its_text() {
    let e = Config::new(vec![], &names(&["a", "*.txt", "("]), vec![]).unwrap_err();
    assert_eq!(e.name, "*.txt");
    assert_eq!(e.message(), "Invalid --name \"*.txt\"");
}

#[test]
fn types_have_letters() {
    assert_eq!(EntryType::Dir.letter(), 'd');
    assert_eq!(EntryType::File.letter(), 'f');
    assert_eq!(EntryType::Link.letter(), 'l');
    assert!(EntryType::Dir.same(&EntryType::Dir));
    assert!(!EntryType::Dir.same(&EntryType::Link));
}
