//! Words written back, with spaces between them.

use crate::text::{join, joined, push_char, strings};
use vstd::prelude::*;

verus! {

/// What is written for the given words: the words with a space between each
/// two, and a line feed after them unless it is left out.
pub open spec fn echo_text(words: Seq<Seq<char>>, omit_newline: bool) -> Seq<char> {
    if omit_newline {
        joined(words, seq![' '])
    } else {
        joined(words, seq![' ']) + seq!['\n']
    }
}

/// The text to write for the given words.
pub fn echo(words: &Vec<String>, omit_newline: bool) -> (text: String)
    ensures
        text@ == echo_text(strings(words@), omit_newline),
{
    let mut text = join(words, ' ');
    if !omit_newline {
        proof {
            assert(text@.push('\n') == text@ + seq!['\n']);
        }
        push_char(&mut text, '\n');
    }
    text
}

} // verus!
