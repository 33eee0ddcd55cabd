//! The entries of a directory walk that have one of the wanted types and a
//! name that one of the wanted expressions matches.

use crate::pattern::{compile, is_match, regex_match};
use crate::report::{Outcome, Report};
use crate::text::{append, join, joined, push_char, strings};
use regex::Regex;
use vstd::prelude::*;
use vstd::string::StringExecFns;
use vstd::utf8::encode_utf8;

verus! {

/// The type of a directory entry.
#[derive(Debug, Clone, Copy, Eq, PartialEq)]
pub enum EntryType {
    Dir,
    File,
    Link,
}

/// The paths to walk, and what is wanted of an entry: a name that one of
/// the expressions matches, and one of the types. An empty list of
/// expressions, or of types, asks for nothing.
#[derive(Debug)]
pub struct Config {
    pub paths: Vec<String>,
    pub names: Vec<Regex>,
    pub entry_types: Vec<EntryType>,
}

/// One entry that a walk came upon: its path, its file name, and its type
/// where it is a directory, a regular file or a symbolic link.
#[derive(Debug)]
pub struct Entry {
    pub path: String,
    pub file_name: String,
    pub kind: Option<EntryType>,
}

/// A name expression that does not compile; the expression is kept.
#[derive(Debug)]
pub struct NameError {
    pub name: String,
}

impl EntryType {
    /// The letter by which the user asks for the type.
    pub fn letter(&self) -> (c: char)
        ensures
            c == match self {
                EntryType::Dir => 'd',
                EntryType::File => 'f',
                EntryType::Link => 'l',
            },
    {
        match self {
            EntryType::Dir => 'd',
            EntryType::File => 'f',
            EntryType::Link => 'l',
        }
    }

    /// Tells whether two types are the same.
    pub fn same(&self, other: &EntryType) -> (r: bool)
        ensures
            r == (*self == *other),
    {
        match (self, other) {
            (EntryType::Dir, EntryType::Dir) => true,
            (EntryType::File, EntryType::File) => true,
            (EntryType::Link, EntryType::Link) => true,
            _ => false,
        }
    }
}

impl NameError {
    /// The text that describes the error.
    pub fn message(&self) -> (text: String)
        ensures
            text@ == "Invalid --name \""@ + self.name@ + "\""@,
    {
        let mut text = String::from_str("Invalid --name \"");
        text.append(self.name.as_str());
        text.append("\"");
        text
    }
}

/// The entry has one of the wanted types, or no type is asked for.
pub open spec fn type_wanted(kind: Option<EntryType>, wanted: Seq<EntryType>) -> bool {
    wanted.len() == 0 || (kind is Some && wanted.contains(kind->0))
}

/// One of the expressions matches the name, or no name is asked for.
pub open spec fn name_wanted(file_name: Seq<char>, names: Seq<Regex>) -> bool {
    names.len() == 0 || exists|i: int| 0 <= i < names.len() && regex_match(#[trigger] names[i], file_name)
}

/// The entry is wanted.
pub open spec fn wanted(entry: Entry, config: Config) -> bool {
    type_wanted(entry.kind, config.entry_types@) && name_wanted(entry.file_name@, config.names@)
}

/// The paths of the wanted entries of a walk, in the order of the walk.
pub open spec fn wanted_paths(items: Seq<Result<Entry, String>>, config: Config) -> Seq<Seq<char>>
    decreases items.len(),
{
    if items.len() == 0 {
        Seq::empty()
    } else {
        let rest = wanted_paths(items.drop_last(), config);
        match items.last() {
            Ok(entry) => if wanted(entry, config) {
                rest.push(entry.path@)
            } else {
                rest
            },
            Err(_) => rest,
        }
    }
}

/// The messages of the errors of a walk, in the order of the walk.
pub open spec fn walk_errors(items: Seq<Result<Entry, String>>) -> Seq<Seq<char>>
    decreases items.len(),
{
    if items.len() == 0 {
        Seq::empty()
    } else {
        let rest = walk_errors(items.drop_last());
        match items.last() {
            Ok(_) => rest,
            Err(message) => rest.push(message@),
        }
    }
}

/// What a run over the given walks produces: for each walk one line for
/// each wanted entry, or an empty line where there is none, and one
/// diagnostic line for each error.
pub open spec fn run_result(walks: Seq<Vec<Result<Entry, String>>>, config: Config) -> Report
    decreases walks.len(),
{
    if walks.len() == 0 {
        Report { output: Seq::empty(), diagnostics: Seq::empty(), failed: false }
    } else {
        let rest = run_result(walks.drop_last(), config);
        Report {
            output: rest.output + encode_utf8(
                joined(wanted_paths(walks.last()@, config), seq!['\n']) + seq!['\n'],
            ),
            diagnostics: rest.diagnostics + walk_errors(walks.last()@),
            failed: false,
        }
    }
}

impl Config {
    /// The configuration for the given paths, name expressions and types.
    /// Fails at the first expression that does not compile, and keeps it.
    pub fn new(paths: Vec<String>, names: &Vec<String>, entry_types: Vec<EntryType>) -> (r: Result<
        Config,
        NameError,
    >)
        ensures
            match r {
                Ok(c) => c.paths == paths && c.entry_types == entry_types && c.names@.len()
                    == names@.len(),
                Err(e) => exists|i: int| 0 <= i < names@.len() && e.name@ == names@[i]@,
            },
    {
        let mut compiled: Vec<Regex> = Vec::new();
        let mut i: usize = 0;
        while i < names.len()
            invariant
                i <= names@.len(),
                compiled@.len() == i,
            decreases names@.len() - i,
        {
            match compile(names[i].as_str(), false) {
                Ok(pattern) => {
                    compiled.push(pattern);
                },
                Err(_) => {
                    return Err(NameError { name: names[i].clone() });
                },
            }
            i += 1;
        }
        Ok(Config { paths, names: compiled, entry_types })
    }

    /// Tells whether the entry has one of the wanted types.
    pub fn wants_type(&self, kind: &Option<EntryType>) -> (r: bool)
        ensures
            r == type_wanted(*kind, self.entry_types@),
    {
        if self.entry_types.len() == 0 {
            return true;
        }
        match kind {
            None => false,
            Some(k) => {
                let mut i: usize = 0;
                while i < self.entry_types.len()
                    invariant
                        i <= self.entry_types@.len(),
                        *kind == Some(*k),
                        forall|j: int| 0 <= j < i ==> self.entry_types@[j] != *k,
                    decreases self.entry_types@.len() - i,
                {
                    if self.entry_types[i].same(k) {
                        proof {
                            assert(self.entry_types@[i as int] == *k);
                        }
                        return true;
                    }
                    i += 1;
                }
                false
            },
        }
    }

    /// Tells whether one of the name expressions matches the file name.
    pub fn wants_name(&self, file_name: &str) -> (r: bool)
        ensures
            r == name_wanted(file_name@, self.names@),
    {
        if self.names.len() == 0 {
            return true;
        }
        let mut i: usize = 0;
        while i < self.names.len()
            invariant
                i <= self.names@.len(),
                forall|j: int| 0 <= j < i ==> !regex_match(#[trigger] self.names@[j], file_name@),
            decreases self.names@.len() - i,
        {
            if is_match(&self.names[i], file_name) {
                return true;
            }
            i += 1;
        }
        false
    }

    /// Tells whether the entry is wanted.
    pub fn wants(&self, entry: &Entry) -> (r: bool)
        ensures
            r == wanted(*entry, *self),
    {
        self.wants_type(&entry.kind) && self.wants_name(entry.file_name.as_str())
    }
}

/// Goes through the walks, one for each path, and lists the wanted entries.
pub fn run(config: &Config, walks: &Vec<Vec<Result<Entry, String>>>) -> (outcome: Outcome)
    ensures
        outcome@ == run_result(walks@, *config),
{
    let mut output: Vec<u8> = Vec::new();
    let mut diagnostics: Vec<String> = Vec::new();
    let mut w: usize = 0;
    proof {
        assert(walks@.take(0) == Seq::<Vec<Result<Entry, String>>>::empty());
        assert(strings(diagnostics@) == Seq::<Seq<char>>::empty());
    }
    while w < walks.len()
        invariant
            w <= walks@.len(),
            output@ == run_result(walks@.take(w as int), *config).output,
            strings(diagnostics@) == run_result(walks@.take(w as int), *config).diagnostics,
        decreases walks@.len() - w,
    {
        let items = &walks[w];
        let ghost before = strings(diagnostics@);
        let mut kept: Vec<String> = Vec::new();
        let mut i: usize = 0;
        proof {
            assert(walks@.take(w + 1).drop_last() == walks@.take(w as int));
            assert(walks@.take(w + 1).last() == walks@[w as int]);
            assert(items@.take(0) == Seq::<Result<Entry, String>>::empty());
            assert(strings(kept@) == Seq::<Seq<char>>::empty());
            assert(before + Seq::<Seq<char>>::empty() == before);
        }
        while i < items.len()
            invariant
                i <= items@.len(),
                strings(kept@) == wanted_paths(items@.take(i as int), *config),
                strings(diagnostics@) == before + walk_errors(items@.take(i as int)),
            decreases items@.len() - i,
        {
            let ghost kept_before = strings(kept@);
            let ghost diag_before = strings(diagnostics@);
            proof {
                assert(items@.take(i + 1).drop_last() == items@.take(i as int));
                assert(items@.take(i + 1).last() == items@[i as int]);
            }
            match &items[i] {
                Ok(entry) => {
                    if config.wants(entry) {
                        kept.push(entry.path.clone());
                        proof {
                            assert(strings(kept@) == kept_before.push(entry.path@));
                        }
                    }
                },
                Err(message) => {
                    diagnostics.push(message.clone());
                    proof {
                        assert(strings(diagnostics@) == diag_before.push(message@));
                        let errors = walk_errors(items@.take(i as int));
                        assert((before + errors).push(message@) == before + errors.push(message@));
                    }
                },
            }
            i += 1;
        }
        proof {
            assert(items@.take(i as int) == items@);
        }
        let mut text = join(&kept, '\n');
        proof {
            assert(text@.push('\n') == text@ + seq!['\n']);
        }
        push_char(&mut text, '\n');
        append(&mut output, text.as_str().as_bytes());
        w += 1;
    }
    proof {
        assert(walks@.take(w as int) == walks@);
    }
    Outcome { output, diagnostics, failure: None }
}

} // verus!
