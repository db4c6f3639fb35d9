//! The whole engine: a line of text against a pattern in its written form.

use vstd::prelude::*;
use vstd::slice::slice_subrange;
use crate::compiler::{CompileError, compile, build_patterrns};
use crate::cursor::Cursor;
use crate::matcher::{match_nodes, match_pattern_from};
use crate::pattern::{Node, Pattern, nodes_of};
use crate::text::chars_of;

verus! {

/// The length of `line` without the newlines at its end.
pub open spec fn trimmed_len(line: Seq<char>) -> nat
    decreases line.len(),
{
    if line.len() > 0 && line.last() == '\n' {
        trimmed_len(line.drop_last())
    } else {
        line.len()
    }
}

/// `line` without the newlines at its end.
pub open spec fn trim_line(line: Seq<char>) -> Seq<char> {
    line.subrange(0, trimmed_len(line) as int)
}

/// Whether `nodes` match `text` from `start` on.
pub open spec fn matches_at(nodes: Seq<Node>, text: Seq<char>, start: int) -> bool {
    match_nodes(nodes, 0, text, start) is Some
}

/// Whether `nodes` match `text` from some position on, the end of the text
/// included.
pub open spec fn matches_somewhere(nodes: Seq<Node>, text: Seq<char>) -> bool {
    exists|start: int| 0 <= start <= text.len() && #[trigger] matches_at(nodes, text, start)
}

/// Whether `pattern` begins with `^`, which ties a match to the start of the
/// line.
pub open spec fn is_anchored(pattern: Seq<char>) -> bool {
    pattern.len() > 0 && pattern[0] == '^'
}

/// Whether `input`, without the newlines at its end, matches `pattern`; or
/// why `pattern` is refused. A pattern that begins with `^` is compiled
/// without it and must match from the start of the line; any other pattern
/// may match from any position.
pub open spec fn match_result(input: Seq<char>, pattern: Seq<char>) -> Result<bool, CompileError> {
    if is_anchored(pattern) {
        match compile(pattern.subrange(1, pattern.len() as int), 0) {
            Ok(nodes) => Ok(matches_at(nodes, trim_line(input), 0)),
            Err(e) => Err(e),
        }
    } else {
        match compile(pattern, 0) {
            Ok(nodes) => Ok(matches_somewhere(nodes, trim_line(input))),
            Err(e) => Err(e),
        }
    }
}

/// The number of characters of `line` before the newlines at its end.
pub fn trimmed_length(line: &[char]) -> (len: usize)
    ensures
        len == trimmed_len(line@),
        len <= line@.len(),
{
    let mut len: usize = line.len();
    assert(line@.subrange(0, len as int) =~= line@);
    while len > 0 && line[len - 1] == '\n'
        invariant
            len <= line@.len(),
            trimmed_len(line@) == trimmed_len(line@.subrange(0, len as int)),
        decreases len,
    {
        assert(line@.subrange(0, len as int).drop_last() =~= line@.subrange(0, len - 1));
        len -= 1;
    }
    len
}

/// Whether `patterns` match `line` from some position on, tried from the
/// start of the line to its end.
pub fn match_anywhere(line: &[char], patterns: &Vec<Pattern>) -> (matched: bool)
    ensures
        matched == matches_somewhere(nodes_of(patterns@), line@),
{
    let mut i: usize = 0;
    loop
        invariant
            i <= line@.len(),
            forall|k: int| 0 <= k < i ==> !matches_at(nodes_of(patterns@), line@, k),
        decreases line@.len() - i,
    {
        let mut it = Cursor::new(line, i);
        if match_pattern_from(&mut it, patterns) {
            assert(matches_at(nodes_of(patterns@), line@, i as int));
            return true;
        }
        if i >= line.len() {
            return false;
        }
        i += 1;
    }
}

/// Whether `input_line` matches `pattern`, as `match_result` says; or why
/// `pattern` is refused.
pub fn match_pattern(input_line: &str, pattern: &str) -> (matched: Result<bool, CompileError>)
    ensures
        matched == match_result(input_line@, pattern@),
{
    let input = chars_of(input_line);
    let len = trimmed_length(input.as_slice());
    let line = slice_subrange(input.as_slice(), 0, len);
    let pattern = chars_of(pattern);
    let mut ors: u32 = 0;
    if pattern.len() > 0 && pattern[0] == '^' {
        let rest = slice_subrange(pattern.as_slice(), 1, pattern.len());
        match build_patterrns(rest, &mut ors) {
            Ok(patterns) => {
                let mut it = Cursor::new(line, 0);
                Ok(match_pattern_from(&mut it, &patterns))
            },
            Err(e) => Err(e),
        }
    } else {
        match build_patterrns(pattern.as_slice(), &mut ors) {
            Ok(patterns) => Ok(match_anywhere(line, &patterns)),
            Err(e) => Err(e),
        }
    }
}

} // verus!
