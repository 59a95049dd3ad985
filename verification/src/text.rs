use vstd::prelude::*;

verus! {

/// The lines of a text, each keeping the line break that ends it, as
/// `ropey` splits them. A function of the text alone.
pub uninterp spec fn lines_of(text: Seq<char>) -> Seq<Seq<char>>;

/// Relies on ropey::Rope::lines: it splits the text into its lines, each
/// line keeping its terminating line break, and the split depends on the
/// text alone.
#[verifier::external_body]
pub(crate) fn split_lines(text: &str) -> (lines: Vec<Vec<char>>)
    ensures
        lines.deep_view() == lines_of(text@),
{
    ropey::Rope::from_str(text).lines().map(|line| line.chars().collect()).collect()
}

/// Whether `ch` can end a line: the line breaks `ropey` recognizes.
pub open spec fn is_line_break(ch: char) -> bool {
    ||| ch == '\n'
    ||| ch == '\r'
    ||| ch == '\u{b}'
    ||| ch == '\u{c}'
    ||| ch == '\u{85}'
    ||| ch == '\u{2028}'
    ||| ch == '\u{2029}'
}

/// A line without the line break that ends it; a line that ends in none
/// (the last line of a text) is kept whole.
pub open spec fn line_content(line: Seq<char>) -> Seq<char> {
    if line.len() >= 2 && line[line.len() - 2] == '\r' && line[line.len() - 1] == '\n' {
        line.subrange(0, line.len() - 2)
    } else if line.len() >= 1 && is_line_break(line[line.len() - 1]) {
        line.subrange(0, line.len() - 1)
    } else {
        line
    }
}

/// The length of `line` once its terminating line break is dropped.
/// `line_content` is a prefix, so this length names it fully.
pub(crate) fn content_len(line: &Vec<char>) -> (n: usize)
    ensures
        n <= line@.len(),
        line_content(line@) == line@.subrange(0, n as int),
{
    let len = line.len();
    if len >= 2 && line[len - 2] == '\r' && line[len - 1] == '\n' {
        len - 2
    } else if len >= 1 && is_break_char(line[len - 1]) {
        len - 1
    } else {
        len
    }
}

/// Whether `ch` can end a line; the executable twin of `is_line_break`.
pub(crate) fn is_break_char(ch: char) -> (r: bool)
    ensures
        r == is_line_break(ch),
{
    ch == '\n' || ch == '\r' || ch == '\u{b}' || ch == '\u{c}' || ch == '\u{85}' || ch == '\u{2028}'
        || ch == '\u{2029}'
}

} // verus!
