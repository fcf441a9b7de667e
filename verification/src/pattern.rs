//! Regular expressions: the patterns that the library searches for, and the
//! calls into the `regex` crate.

use regex::Regex;
use vstd::prelude::*;
use vstd::utf8::{decode_utf8, encode_utf8};

verus! {

/// The pattern of an identifier.
pub const IDENTIFIER_PATTERN: &'static str = "\\b[A-Za-z_][A-Za-z0-9_]*\\b";

/// The number of bytes up to which a label is sure to have a pattern that
/// compiles.
pub const MAX_LABEL_BYTES: usize = 327_600;

/// A pattern that did not compile.
#[derive(Debug)]
pub struct PatternError {
    pub pattern: String,
}

/// Declares `regex::Regex`, a compiled regular expression.
#[verifier::external_type_specification]
#[verifier::external_body]
pub struct ExRegex(regex::Regex);

/// Declares `regex::Error`, why a pattern did not compile.
#[verifier::external_type_specification]
#[verifier::external_body]
pub struct ExRegexError(regex::Error);

/// What a compiled expression was compiled from: its pattern, with the options
/// where there are any. `Regex::new` sets no option, so for an expression that
/// it made this is the pattern.
pub uninterp spec fn regex_source(regex: regex::Regex) -> Seq<char>;

/// The matches in `text` of the expression compiled from `source`, as
/// `Regex::find_iter` gives them: the byte offsets of the start and of the end
/// of each match.
pub uninterp spec fn regex_matches(source: Seq<char>, text: Seq<char>) -> Seq<(usize, usize)>;

/// The characters that have a meaning in a pattern.
pub open spec fn is_meta_character(c: char) -> bool {
    ||| c == '\\' || c == '.' || c == '+' || c == '*' || c == '?' || c == '(' || c == ')'
    ||| c == '|' || c == '[' || c == ']' || c == '{' || c == '}' || c == '^' || c == '$'
    ||| c == '#' || c == '&' || c == '-' || c == '~'
}

/// A character, behind a backslash where it has a meaning in a pattern.
pub open spec fn escaped_character() -> spec_fn(char) -> Seq<char> {
    |c: char|
        if is_meta_character(c) {
            seq!['\\', c]
        } else {
            seq![c]
        }
}

/// The pattern that matches a text literally.
pub open spec fn escaped(text: Seq<char>) -> Seq<char> {
    text.flat_map(escaped_character())
}

/// The pattern that matches a label as a whole word.
pub open spec fn word_pattern(label: Seq<char>) -> Seq<char> {
    "\\b("@ + escaped(label) + ")\\b"@
}

/// The label is short enough for its pattern to be sure to compile.
pub open spec fn is_short(label: Seq<char>) -> bool {
    encode_utf8(label).len() <= MAX_LABEL_BYTES
}

/// The pattern is that of a short label.
pub open spec fn is_short_word(pattern: Seq<char>) -> bool {
    exists|label: Seq<char>| is_short(label) && pattern == #[trigger] word_pattern(label)
}

/// The text from a byte offset on.
pub open spec fn text_from(text: Seq<char>, start: int) -> Seq<char> {
    let bytes = encode_utf8(text);
    decode_utf8(bytes.subrange(start, bytes.len() as int))
}

/// Compiles a pattern with `Regex::new`. The contract says what the expression
/// was compiled from, and that two kinds of patterns compile: the pattern of an
/// identifier, and that of a short label. `Regex::new` refuses a pattern that is
/// not valid, which neither of them is, and one whose program is over the default
/// limit of 10 MiB. A literal takes one state per byte, the rest of the pattern
/// takes about ten, and a state has 32 bytes where addresses have 64 bits and 16
/// where they have 32, so the program of a short label stays below the limit.
/// Which longer labels compile is left open: it rests on the size of a state on the
/// machine.
#[verifier::external_body]
fn compile(pattern: &str) -> (result: Result<Regex, regex::Error>)
    ensures
        result matches Ok(regex) ==> regex_source(regex) == pattern@,
        pattern@ == IDENTIFIER_PATTERN@ ==> result is Ok,
        is_short_word(pattern@) ==> result is Ok,
{
    Regex::new(pattern)
}

/// Escapes a text with `regex::escape`, which puts a backslash in front of each
/// character that has a meaning in a pattern.
#[verifier::external_body]
fn escape(text: &str) -> (pattern: String)
    ensures
        pattern@ == escaped(text@),
{
    regex::escape(text)
}

/// Lists the matches that `Regex::find_iter` finds. The contract names the list
/// and says that each match lies in the text, and that the matches come in the
/// order of the text and do not overlap.
#[verifier::external_body]
pub(crate) fn find_ranges(regex: &Regex, text: &str) -> (ranges: Vec<(usize, usize)>)
    ensures
        ranges@ == regex_matches(regex_source(*regex), text@),
        forall|i: int|
            0 <= i < ranges.len() ==> (#[trigger] ranges[i]).0 <= ranges[i].1 <= encode_utf8(
                text@,
            ).len(),
        forall|i: int, j: int|
            0 <= i < j < ranges.len() ==> (#[trigger] ranges[i]).1 <= (#[trigger] ranges[j]).0,
{
    regex.find_iter(text).map(|found| (found.start(), found.end())).collect()
}

/// Compiles a pattern, or says that it does not compile.
pub(crate) fn compile_pattern(pattern: String) -> (result: Result<Regex, PatternError>)
    ensures
        match result {
            Ok(regex) => regex_source(regex) == pattern@,
            Err(error) => {
                &&& error.pattern@ == pattern@
                &&& pattern@ != IDENTIFIER_PATTERN@
                &&& !is_short_word(pattern@)
            },
        },
{
    match compile(pattern.as_str()) {
        Ok(regex) => Ok(regex),
        Err(_) => Err(PatternError { pattern }),
    }
}

/// The pattern that matches a label as a whole word.
pub fn label_pattern(label: &str) -> (pattern: String)
    ensures
        pattern@ == word_pattern(label@),
{
    let mut pattern = String::new();
    pattern.append("\\b(");
    pattern.append(escape(label).as_str());
    pattern.append(")\\b");
    pattern
}

} // verus!
