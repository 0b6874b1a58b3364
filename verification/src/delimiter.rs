//! Delimiters as a user writes them: the escapes `\n`, `\r` and `\t` stand for a line
//! feed, a carriage return and a tab.

use crate::scan::{occurs_at, occurs_here};
use crate::scanner::append_chars;
use vstd::prelude::*;

verus! {

/// `text` from position `from` on, with `with` in place of every occurrence of `pattern`:
/// occurrences are taken from left to right and do not overlap, and an empty pattern
/// occurs nowhere.
pub open spec fn replaced_from(
    text: Seq<char>,
    pattern: Seq<char>,
    with: Seq<char>,
    from: int,
) -> Seq<char>
    decreases text.len() - from,
{
    if from < 0 || from >= text.len() {
        Seq::empty()
    } else if occurs_at(text, pattern, from) {
        with + replaced_from(text, pattern, with, from + pattern.len())
    } else {
        seq![text[from]] + replaced_from(text, pattern, with, from + 1)
    }
}

/// `text` with `with` in place of every occurrence of `pattern`.
pub open spec fn replaced(text: Seq<char>, pattern: Seq<char>, with: Seq<char>) -> Seq<char> {
    replaced_from(text, pattern, with, 0)
}

/// A delimiter with its escapes expanded: first every `\n`, then every `\r`, then every
/// `\t`.
pub open spec fn expanded(raw: Seq<char>) -> Seq<char> {
    replaced(replaced(replaced(raw, "\\n"@, "\n"@), "\\r"@, "\r"@), "\\t"@, "\t"@)
}

/// Puts `with` in place of every occurrence of `pattern` in `text`.
pub fn replace_all(text: &str, pattern: &str, with: &str) -> (out: String)
    ensures
        out@ == replaced(text@, pattern@, with@),
{
    let mut chars: Vec<char> = Vec::new();
    append_chars(&mut chars, text);
    let mut sought: Vec<char> = Vec::new();
    append_chars(&mut sought, pattern);
    let mut out = String::new();
    let mut pos: usize = 0;
    while pos < chars.len()
        invariant
            pos <= chars.len(),
            chars@ == text@,
            sought@ == pattern@,
            out@ + replaced_from(text@, pattern@, with@, pos as int) == replaced(
                text@,
                pattern@,
                with@,
            ),
        decreases chars.len() - pos,
    {
        if occurs_here(chars.as_slice(), sought.as_slice(), pos) {
            out.append(with);
            pos += sought.len();
        } else {
            out.append(text.substring_char(pos, pos + 1));
            pos += 1;
        }
    }
    out
}

/// Expands the escapes `\n`, `\r` and `\t` of a delimiter.
pub fn expand_escapes(raw: &str) -> (delimiter: String)
    ensures
        delimiter@ == expanded(raw@),
{
    let first = replace_all(raw, "\\n", "\n");
    let second = replace_all(first.as_str(), "\\r", "\r");
    replace_all(second.as_str(), "\\t", "\t")
}

} // verus!
